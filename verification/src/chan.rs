//! The endpoint surface: typed handles over port rights, and the
//! send/receive protocol that moves one message — payload bytes plus a list
//! of transferred endpoints — through a port in one atomic operation.
//!
//! A handle holds a port name and nothing else; what the name entitles the
//! holder to is tracked by the [`PortTable`]. Every operation that touches a
//! right takes the table and states exactly how it changes.

use crate::table::{
    PortTable, RecvOutcome, BOOTSTRAP_UNKNOWN_SERVICE, KERN_INVALID_NAME, KERN_INVALID_RIGHT,
    KERN_SUCCESS, KERN_UREFS_OVERFLOW, MACH_MSG_SUCCESS, MACH_RCV_BODY_ERROR, MACH_RCV_TOO_LARGE,
    MACH_SEND_INVALID_DEST, RECV_SIZE_CORRECTION,
};
use crate::wire::{
    build_message, parse_message, spec_message_bytes, spec_msg_descriptors, spec_msg_payload,
    spec_unpadded_size, wf_message, PortDescriptor, MACH_MSG_TYPE_COPY_SEND,
    MACH_MSG_TYPE_MOVE_RECEIVE,
};
use vstd::assert_seqs_equal;
use vstd::prelude::*;

verus! {

/// The buffer size tried first on receive; a larger message is detected and
/// fetched again with a buffer sized from the kernel's report.
pub const SMALL_MESSAGE_SIZE: usize = 4096;

/// Exclusive holder of a receive right. A live handle holds a nonzero port
/// name; a consumed handle holds the null name and releasing it does
/// nothing.
#[derive(PartialEq, Eq, Structural, Debug)]
pub struct MachReceiver {
    pub port: u32,
}

/// Holder of one counted send right.
#[derive(PartialEq, Eq, Structural, Debug)]
pub struct MachSender {
    pub port: u32,
}

/// An endpoint being handed to the peer inside a message. Ownership moves
/// into the message at send time: a sent receive right moves, a sent send
/// right is copied and the local handle given up.
pub enum MachChannel {
    Sender(MachSender),
    Receiver(MachReceiver),
}

/// An endpoint just taken out of a received message, not yet classified as
/// sender or receiver. It must be classified exactly once; a handle still
/// holding a nonzero name when abandoned is a leaked right.
#[derive(PartialEq, Eq, Structural, Debug)]
pub struct OpaqueMachChannel {
    pub port: u32,
}

/// A group of receivers served by one blocking wait.
pub struct MachReceiverSet {
    pub port: u32,
}

/// The descriptor an outgoing endpoint becomes: its port name, and the
/// disposition tag for its kind of right.
pub open spec fn spec_descriptor_of(c: MachChannel) -> PortDescriptor {
    match c {
        MachChannel::Sender(s) => PortDescriptor {
            port: s.port,
            disposition: MACH_MSG_TYPE_COPY_SEND,
        },
        MachChannel::Receiver(r) => PortDescriptor {
            port: r.port,
            disposition: MACH_MSG_TYPE_MOVE_RECEIVE,
        },
    }
}

/// The descriptors of an outgoing endpoint list, in order.
pub open spec fn spec_descriptors_of(cs: Seq<MachChannel>) -> Seq<PortDescriptor> {
    cs.map_values(|c: MachChannel| spec_descriptor_of(c))
}

/// Creates a connected pair over a fresh port: the receiver holds its
/// receive right, the sender its first send right.
pub fn channel(t: &mut PortTable) -> (r: Result<(MachSender, MachReceiver), i32>)
    requires
        old(t).wf(),
        old(t).entries@.len() + 2 <= u32::MAX,
    ensures
        final(t).wf(),
        r is Ok,
        ({
            let s = r->Ok_0.0;
            let rx = r->Ok_0.1;
            &&& s.port == rx.port
            &&& rx.port != 0
            &&& !old(t).valid_name(rx.port)
            &&& final(t).is_receive(rx.port)
            &&& final(t).sendable(s.port)
            &&& final(t).entry(rx.port).send_refs == 1
            &&& final(t).entry(rx.port).in_set == 0
            &&& final(t).queue_of(rx.port) == Seq::<Seq<u8>>::empty()
            &&& final(t).entries@.len() == old(t).entries@.len() + 1
            &&& final(t).registry == old(t).registry
            &&& forall|q: u32|
                old(t).valid_name(q) ==> final(t).entry(q) == #[trigger] old(t).entry(q)
        }),
{
    let receiver = match MachReceiver::new(t) {
        Ok(r) => r,
        Err(code) => {
            return Err(code);
        },
    };
    let sender = match receiver.sender(t) {
        Ok(s) => s,
        Err(code) => {
            return Err(code);
        },
    };
    Ok((sender, receiver))
}

impl MachReceiver {
    /// Allocates a fresh port and takes its receive right.
    pub(crate) fn new(t: &mut PortTable) -> (r: Result<MachReceiver, i32>)
        requires
            old(t).wf(),
            old(t).entries@.len() + 2 <= u32::MAX,
        ensures
            final(t).wf(),
            r is Ok,
            ({
                let rx = r->Ok_0;
                &&& rx.port != 0
                &&& !old(t).valid_name(rx.port)
                &&& final(t).is_receive(rx.port)
                &&& final(t).entry(rx.port).send_refs == 0
                &&& final(t).entry(rx.port).in_set == 0
                &&& final(t).queue_of(rx.port) == Seq::<Seq<u8>>::empty()
                &&& final(t).entries@.len() == old(t).entries@.len() + 1
                &&& final(t).registry == old(t).registry
                &&& forall|q: u32|
                    old(t).valid_name(q) ==> final(t).entry(q) == #[trigger] old(t).entry(q)
            }),
    {
        match t.allocate_receive_right() {
            Ok(port) => Ok(MachReceiver::from_name(port)),
            Err(code) => Err(code),
        }
    }

    /// Wraps an already-owned receive right.
    pub(crate) fn from_name(port: u32) -> (r: MachReceiver)
        ensures
            r.port == port,
    {
        MachReceiver { port }
    }

    /// Takes the port name out of the handle, marking it null so that a
    /// later release does nothing.
    pub(crate) fn consume_port(&mut self) -> (port: u32)
        requires
            old(self).port != 0,
        ensures
            port == old(self).port,
            final(self).port == 0,
    {
        let port = self.port;
        self.port = 0;
        port
    }

    /// Transfers the receive right into a fresh handle, marking this one
    /// null; the underlying right is released exactly once.
    pub fn consume(&mut self) -> (r: MachReceiver)
        requires
            old(self).port != 0,
        ensures
            r.port == old(self).port,
            final(self).port == 0,
    {
        let port = self.consume_port();
        MachReceiver::from_name(port)
    }

    /// Derives a sender for this port by extracting one more send right.
    pub(crate) fn sender(&self, t: &mut PortTable) -> (r: Result<MachSender, i32>)
        requires
            old(t).wf(),
            self.port != 0,
        ensures
            final(t).wf(),
            old(t).is_receive(self.port) && old(t).send_refs(self.port) < u32::MAX ==> {
                &&& r is Ok
                &&& r->Ok_0.port == self.port
                &&& old(t).same_except(*final(t), self.port)
                &&& final(t).sendable(self.port)
                &&& final(t).entry(self.port).send_refs == old(t).entry(self.port).send_refs + 1
                &&& final(t).entry(self.port).in_set == old(t).entry(self.port).in_set
                &&& final(t).entry(self.port).queue == old(t).entry(self.port).queue
            },
            !old(t).is_receive(self.port) ==> r == Err::<MachSender, i32>(KERN_INVALID_RIGHT)
                && *final(t) == *old(t),
            old(t).is_receive(self.port) && old(t).send_refs(self.port) == u32::MAX ==> r
                == Err::<MachSender, i32>(KERN_UREFS_OVERFLOW) && *final(t) == *old(t),
    {
        match t.extract_send_right(self.port) {
            Ok(right) => Ok(MachSender::from_name(right)),
            Err(code) => Err(code),
        }
    }

    /// Receives the next message sent to this port: its payload bytes and
    /// its transferred endpoints, still unclassified, in order.
    pub fn recv(&self, t: &mut PortTable) -> (r: Result<(Vec<u8>, Vec<OpaqueMachChannel>), i32>)
        requires
            old(t).wf(),
            self.port != 0,
            old(t).has_pending(self.port),
        ensures
            final(t).wf(),
            old(t).ready_port(self.port) is Some,
            ({
                let p = old(t).ready_port(self.port)->Some_0;
                let front = old(t).queue_of(p)[0];
                &&& old(t).same_except(*final(t), p)
                &&& final(t).is_receive(p)
                &&& final(t).queue_of(p) == old(t).queue_of(p).drop_first()
                &&& final(t).entry(p).send_refs == old(t).entry(p).send_refs
                &&& final(t).entry(p).in_set == old(t).entry(p).in_set
                &&& match r {
                    Ok(out) => {
                        &&& wf_message(front)
                        &&& out.0@ == spec_msg_payload(front)
                        &&& out.1@.len() == spec_msg_descriptors(front).len()
                        &&& forall|i: int|
                            0 <= i < out.1@.len() ==> (#[trigger] out.1@[i]).port
                                == spec_msg_descriptors(front)[i].port
                    },
                    Err(code) => code == MACH_RCV_BODY_ERROR && !wf_message(front),
                }
            }),
    {
        match recv_on(t, self.port) {
            Ok(out) => Ok((out.1, out.2)),
            Err(code) => Err(code),
        }
    }

    /// Gives the receive right back, unless the handle was consumed. A live
    /// handle must still hold its right: releasing is exact, never double.
    pub fn release(self, t: &mut PortTable)
        requires
            old(t).wf(),
            self.port != 0 ==> old(t).is_receive(self.port),
        ensures
            final(t).wf(),
            self.port == 0 ==> *final(t) == *old(t),
            self.port != 0 ==> {
                &&& old(t).same_except(*final(t), self.port)
                &&& !final(t).is_receive(self.port)
                &&& final(t).entry(self.port).send_refs == old(t).entry(self.port).send_refs
                &&& final(t).entry(self.port).queue == old(t).entry(self.port).queue
            },
    {
        if self.port != 0 {
            let code = t.release_receive_right(self.port);
            proof {
                assert(code == KERN_SUCCESS);
            }
        }
    }
}

impl MachSender {
    /// Wraps an already-owned send right.
    pub(crate) fn from_name(port: u32) -> (r: MachSender)
        ensures
            r.port == port,
    {
        MachSender { port }
    }

    /// Resolves a published bootstrap name to a sender holding a fresh send
    /// right on the named port.
    pub fn connect(name: String, t: &mut PortTable) -> (r: Result<MachSender, i32>)
        requires
            old(t).wf(),
        ensures
            final(t).wf(),
            final(t).registry == old(t).registry,
            match old(t).registered_port(name@) {
                Some(p) => {
                    &&& old(t).is_receive(p) && old(t).send_refs(p) < u32::MAX ==> {
                        &&& r is Ok
                        &&& r->Ok_0.port == p
                        &&& old(t).same_except(*final(t), p)
                        &&& final(t).sendable(p)
                        &&& final(t).entry(p).send_refs == old(t).entry(p).send_refs + 1
                        &&& final(t).entry(p).in_set == old(t).entry(p).in_set
                        &&& final(t).entry(p).queue == old(t).entry(p).queue
                    }
                    &&& !old(t).is_receive(p) ==> r == Err::<MachSender, i32>(
                        BOOTSTRAP_UNKNOWN_SERVICE,
                    ) && *final(t) == *old(t)
                    &&& old(t).is_receive(p) && old(t).send_refs(p) == u32::MAX ==> r == Err::<
                        MachSender,
                        i32,
                    >(KERN_UREFS_OVERFLOW) && *final(t) == *old(t)
                },
                None => r == Err::<MachSender, i32>(BOOTSTRAP_UNKNOWN_SERVICE) && *final(t)
                    == *old(t),
            },
    {
        match t.look_up_name(&name) {
            Ok(port) => Ok(MachSender::from_name(port)),
            Err(code) => Err(code),
        }
    }

    /// Sends one message: the payload bytes and the outgoing endpoints, all
    /// of whose ownership is consumed by the call, whether or not the send
    /// succeeds. The built buffer is enqueued on the destination port; a
    /// destination whose receive right is gone fails with
    /// `MACH_SEND_INVALID_DEST`.
    pub fn send(&self, t: &mut PortTable, data: &[u8], ports: Vec<MachChannel>) -> (r: Result<
        (),
        i32,
    >)
        requires
            old(t).wf(),
            spec_unpadded_size(data@.len() as int, ports@.len() as int) + 11 <= u32::MAX,
        ensures
            final(t).wf(),
            old(t).is_receive(self.port) ==> {
                &&& r is Ok
                &&& old(t).same_except(*final(t), self.port)
                &&& final(t).is_receive(self.port)
                &&& final(t).queue_of(self.port) == old(t).queue_of(self.port).push(
                    spec_message_bytes(self.port, data@, spec_descriptors_of(ports@)),
                )
                &&& final(t).entry(self.port).send_refs == old(t).entry(self.port).send_refs
                &&& final(t).entry(self.port).in_set == old(t).entry(self.port).in_set
            },
            !old(t).is_receive(self.port) ==> r == Err::<(), i32>(MACH_SEND_INVALID_DEST)
                && *final(t) == *old(t),
    {
        let n = ports.len();
        let mut descriptors: Vec<PortDescriptor> = Vec::new();
        let mut i: usize = 0;
        while i < n
            invariant
                0 <= i <= n,
                n == ports@.len(),
                descriptors@ == spec_descriptors_of(ports@).subrange(0, i as int),
            decreases n - i,
        {
            let d = match &ports[i] {
                MachChannel::Sender(s) => PortDescriptor {
                    port: s.port,
                    disposition: MACH_MSG_TYPE_COPY_SEND,
                },
                MachChannel::Receiver(r) => PortDescriptor {
                    port: r.port,
                    disposition: MACH_MSG_TYPE_MOVE_RECEIVE,
                },
            };
            descriptors.push(d);
            proof {
                assert_seqs_equal!(descriptors@
                    == spec_descriptors_of(ports@).subrange(0, i + 1 as int));
            }
            i = i + 1;
        }
        proof {
            assert_seqs_equal!(descriptors@ == spec_descriptors_of(ports@));
        }
        let message = build_message(self.port, data, &descriptors);
        let code = t.enqueue(self.port, message);
        if code == MACH_MSG_SUCCESS {
            proof {
                assert(old(t).is_receive(self.port));
            }
            Ok(())
        } else {
            proof {
                assert(!old(t).is_receive(self.port));
            }
            Err(code)
        }
    }

    /// Duplicates the handle: the underlying send right gains one
    /// reference and an independent handle to the same port results. A live
    /// handle always holds a usable right.
    pub fn clone_handle(&self, t: &mut PortTable) -> (s: MachSender)
        requires
            old(t).wf(),
            old(t).sendable(self.port),
            old(t).send_refs(self.port) < u32::MAX,
        ensures
            final(t).wf(),
            s.port == self.port,
            old(t).same_except(*final(t), self.port),
            final(t).sendable(self.port),
            final(t).entry(self.port).send_refs == old(t).entry(self.port).send_refs + 1,
            final(t).entry(self.port).in_set == old(t).entry(self.port).in_set,
            final(t).entry(self.port).queue == old(t).entry(self.port).queue,
    {
        let code = t.add_send_ref(self.port);
        proof {
            assert(code == KERN_SUCCESS);
        }
        MachSender { port: self.port }
    }

    /// Gives up this handle's reference to the send right. When the peer's
    /// receive right is already gone the right is dead and the release is a
    /// benign no-op; a live right must still have a reference to give up.
    pub fn release(self, t: &mut PortTable)
        requires
            old(t).wf(),
            old(t).is_receive(self.port) ==> old(t).send_refs(self.port) > 0,
        ensures
            final(t).wf(),
            old(t).sendable(self.port) ==> {
                &&& old(t).same_except(*final(t), self.port)
                &&& final(t).entry(self.port).send_refs == old(t).entry(self.port).send_refs - 1
                &&& final(t).entry(self.port).receive_live == old(t).entry(self.port).receive_live
                &&& final(t).entry(self.port).in_set == old(t).entry(self.port).in_set
                &&& final(t).entry(self.port).is_set == old(t).entry(self.port).is_set
                &&& final(t).entry(self.port).queue == old(t).entry(self.port).queue
            },
            !old(t).sendable(self.port) ==> *final(t) == *old(t),
    {
        let _code = t.release_send_ref(self.port);
    }
}

impl MachChannel {
    /// The port name this outgoing endpoint references.
    pub fn port(&self) -> (p: u32)
        ensures
            p == spec_descriptor_of(*self).port,
    {
        match self {
            MachChannel::Sender(sender) => sender.port,
            MachChannel::Receiver(receiver) => receiver.port,
        }
    }
}

impl OpaqueMachChannel {
    /// Wraps a just-received, not yet classified endpoint.
    pub(crate) fn from_name(name: u32) -> (r: OpaqueMachChannel)
        ensures
            r.port == name,
    {
        OpaqueMachChannel { port: name }
    }

    /// Classifies this endpoint as a sender, consuming it: the handle is
    /// marked null, and a repeated call yields only a null-backed handle.
    pub fn to_sender(&mut self) -> (s: MachSender)
        ensures
            s.port == old(self).port,
            final(self).port == 0,
    {
        let port = self.port;
        self.port = 0;
        MachSender { port }
    }

    /// Classifies this endpoint as a receiver, consuming it.
    pub fn to_receiver(&mut self) -> (r: MachReceiver)
        ensures
            r.port == old(self).port,
            final(self).port == 0,
    {
        let port = self.port;
        self.port = 0;
        MachReceiver::from_name(port)
    }

    /// Abandons the handle. Only a handle already classified — marked null
    /// — may be abandoned: disposing of one that still holds a nonzero
    /// name would leak its right, so the precondition refuses it at
    /// verification time.
    pub fn dispose(self)
        requires
            self.port == 0,
    {
    }
}

impl MachReceiverSet {
    /// Allocates a fresh, empty port set.
    pub fn new(t: &mut PortTable) -> (r: Result<MachReceiverSet, i32>)
        requires
            old(t).wf(),
            old(t).entries@.len() + 2 <= u32::MAX,
        ensures
            final(t).wf(),
            r is Ok,
            ({
                let s = r->Ok_0;
                &&& s.port != 0
                &&& !old(t).valid_name(s.port)
                &&& final(t).is_port_set(s.port)
                &&& final(t).entries@.len() == old(t).entries@.len() + 1
                &&& final(t).registry == old(t).registry
                &&& forall|q: u32|
                    old(t).valid_name(q) ==> final(t).entry(q) == #[trigger] old(t).entry(q)
            }),
    {
        match t.allocate_port_set() {
            Ok(port) => Ok(MachReceiverSet { port }),
            Err(code) => Err(code),
        }
    }

    /// Moves a receiver's right into the set, consuming the receiver, and
    /// returns the identifier by which later receives name this member: its
    /// port name.
    pub fn add(&self, t: &mut PortTable, receiver: MachReceiver) -> (r: Result<i64, i32>)
        requires
            old(t).wf(),
            receiver.port != 0,
        ensures
            final(t).wf(),
            old(t).is_receive(receiver.port) && old(t).is_port_set(self.port) ==> {
                &&& r == Ok::<i64, i32>(receiver.port as i64)
                &&& old(t).same_except(*final(t), receiver.port)
                &&& final(t).is_receive(receiver.port)
                &&& final(t).entry(receiver.port).in_set == self.port
                &&& final(t).entry(receiver.port).send_refs == old(t).entry(
                    receiver.port,
                ).send_refs
                &&& final(t).entry(receiver.port).queue == old(t).entry(receiver.port).queue
            },
            !old(t).is_receive(receiver.port) ==> r == Err::<i64, i32>(KERN_INVALID_RIGHT)
                && *final(t) == *old(t),
            old(t).is_receive(receiver.port) && !old(t).is_port_set(self.port) ==> r == Err::<
                i64,
                i32,
            >(KERN_INVALID_NAME) && *final(t) == *old(t),
    {
        let mut receiver = receiver;
        let receiver_port = receiver.consume_port();
        let code = t.move_member(receiver_port, self.port);
        if code == KERN_SUCCESS {
            Ok(receiver_port as i64)
        } else {
            Err(code)
        }
    }

    /// Receives the next message pending on any member, returning the
    /// member's identifier beside the payload and endpoints.
    pub fn recv(&self, t: &mut PortTable) -> (r: Result<
        (i64, Vec<u8>, Vec<OpaqueMachChannel>),
        i32,
    >)
        requires
            old(t).wf(),
            self.port != 0,
            old(t).has_pending(self.port),
        ensures
            final(t).wf(),
            old(t).ready_port(self.port) is Some,
            ({
                let p = old(t).ready_port(self.port)->Some_0;
                let front = old(t).queue_of(p)[0];
                &&& old(t).same_except(*final(t), p)
                &&& final(t).is_receive(p)
                &&& final(t).queue_of(p) == old(t).queue_of(p).drop_first()
                &&& final(t).entry(p).send_refs == old(t).entry(p).send_refs
                &&& final(t).entry(p).in_set == old(t).entry(p).in_set
                &&& match r {
                    Ok(out) => {
                        &&& wf_message(front)
                        &&& out.0 == p as i64
                        &&& out.1@ == spec_msg_payload(front)
                        &&& out.2@.len() == spec_msg_descriptors(front).len()
                        &&& forall|i: int|
                            0 <= i < out.2@.len() ==> (#[trigger] out.2@[i]).port
                                == spec_msg_descriptors(front)[i].port
                    },
                    Err(code) => code == MACH_RCV_BODY_ERROR && !wf_message(front),
                }
            }),
    {
        match recv_on(t, self.port) {
            Ok(out) => Ok((out.0 as i64, out.1, out.2)),
            Err(code) => Err(code),
        }
    }
}

/// Law: receiving what was sent reproduces it. The buffer that
/// [`MachSender::send`] enqueues for any payload and endpoint list (within
/// the size field's bounds) is well formed, and parsing it — which is what
/// every receive does to the buffer it dequeues — gives back exactly that
/// payload and one descriptor per endpoint, in the same order and of the
/// same kind.
pub proof fn lemma_send_recv_round_trip(remote: u32, payload: Seq<u8>, cs: Seq<MachChannel>)
    requires
        spec_unpadded_size(payload.len() as int, cs.len() as int) + 11 <= u32::MAX,
    ensures
        wf_message(spec_message_bytes(remote, payload, spec_descriptors_of(cs))),
        spec_msg_payload(spec_message_bytes(remote, payload, spec_descriptors_of(cs))) == payload,
        spec_msg_descriptors(spec_message_bytes(remote, payload, spec_descriptors_of(cs)))
            == spec_descriptors_of(cs),
        spec_descriptors_of(cs).len() == cs.len(),
        forall|i: int|
            0 <= i < cs.len() ==> #[trigger] spec_descriptors_of(cs)[i] == spec_descriptor_of(
                cs[i],
            ),
{
    crate::wire::lemma_message_round_trip(remote, payload, spec_descriptors_of(cs));
}

/// One step in the life of the send right on port `p`: `dup` true is a
/// duplicate (one reference gained, as [`MachSender::clone_handle`]
/// ensures), `dup` false a release (one reference given back, as
/// [`MachSender::release`] ensures on a live right); nothing else about the
/// table changes.
pub open spec fn sender_step(pre: PortTable, post: PortTable, p: u32, dup: bool) -> bool {
    &&& pre.same_except(post, p)
    &&& pre.valid_name(p)
    &&& if dup {
        post.entry(p).send_refs == pre.entry(p).send_refs + 1
    } else {
        post.entry(p).send_refs == pre.entry(p).send_refs - 1
    }
}

/// How many of the steps are duplicates.
pub open spec fn count_dups(steps: Seq<bool>) -> int
    decreases steps.len(),
{
    if steps.len() == 0 {
        0
    } else {
        count_dups(steps.drop_last()) + if steps.last() {
            1int
        } else {
            0int
        }
    }
}

/// Law: across any run of duplicates and releases of the send right on
/// `p`, the outstanding reference count moves by exactly the number of
/// duplicates minus the number of releases.
pub proof fn lemma_sender_refcount_balance(states: Seq<PortTable>, steps: Seq<bool>, p: u32)
    requires
        states.len() == steps.len() + 1,
        forall|i: int|
            0 <= i < steps.len() ==> sender_step(states[i], #[trigger] states[i + 1], p, steps[i]),
    ensures
        states.last().entry(p).send_refs == states[0].entry(p).send_refs + count_dups(steps) - (
        steps.len() - count_dups(steps)),
    decreases steps.len(),
{
    if steps.len() > 0 {
        let shorter = states.drop_last();
        lemma_sender_refcount_balance(shorter, steps.drop_last(), p);
        assert(sender_step(
            states[states.len() - 2],
            states[states.len() - 1],
            p,
            steps.last(),
        ));
        assert(shorter.last() == states[states.len() - 2]);
    }
}

/// Law: duplicating a sender `n` times and then giving up every one of the
/// `n + 1` handles never leaves the underlying right referenced — the
/// count returns to nothing, however the duplicates and releases
/// interleave.
pub proof fn lemma_clone_all_release_exhausts(
    states: Seq<PortTable>,
    steps: Seq<bool>,
    p: u32,
    n: int,
)
    requires
        states.len() == steps.len() + 1,
        forall|i: int|
            0 <= i < steps.len() ==> sender_step(states[i], #[trigger] states[i + 1], p, steps[i]),
        count_dups(steps) == n,
        steps.len() == 2 * n + 1,
        states[0].entry(p).send_refs == 1,
    ensures
        states.last().entry(p).send_refs == 0,
{
    lemma_sender_refcount_balance(states, steps, p);
}

/// The retry decision of the receive protocol: given the status of a
/// receive attempt and the size its report carried, either the buffer size
/// to fetch again with — the understated report corrected by
/// [`RECV_SIZE_CORRECTION`] — or nothing, when the status is not the
/// too-large report (or the corrected size cannot be represented) and no
/// retry is owed.
pub fn recv_retry_decision(code: i32, reported_size: u32) -> (r: Option<u32>)
    ensures
        match r {
            Some(size) => code == MACH_RCV_TOO_LARGE && reported_size + RECV_SIZE_CORRECTION
                <= u32::MAX && size == reported_size + RECV_SIZE_CORRECTION,
            None => code != MACH_RCV_TOO_LARGE || reported_size + RECV_SIZE_CORRECTION
                > u32::MAX,
        },
{
    if code == MACH_RCV_TOO_LARGE && reported_size <= u32::MAX - RECV_SIZE_CORRECTION {
        Some(reported_size + RECV_SIZE_CORRECTION)
    } else {
        None
    }
}

/// The receive protocol on `source`, a port or a port set: try a
/// small buffer first; when the pending message is larger, correct the
/// understated size report by [`RECV_SIZE_CORRECTION`] and fetch again with
/// room for the whole message; then parse payload and endpoints out of the
/// buffer.
fn recv_on(t: &mut PortTable, source: u32) -> (r: Result<
    (u32, Vec<u8>, Vec<OpaqueMachChannel>),
    i32,
>)
    requires
        old(t).wf(),
        source != 0,
        old(t).has_pending(source),
    ensures
        final(t).wf(),
        old(t).ready_port(source) is Some,
        ({
            let p = old(t).ready_port(source)->Some_0;
            let front = old(t).queue_of(p)[0];
            &&& old(t).same_except(*final(t), p)
            &&& final(t).is_receive(p)
            &&& final(t).queue_of(p) == old(t).queue_of(p).drop_first()
            &&& final(t).entry(p).send_refs == old(t).entry(p).send_refs
            &&& final(t).entry(p).in_set == old(t).entry(p).in_set
            &&& match r {
                Ok(out) => {
                    &&& wf_message(front)
                    &&& out.0 == p
                    &&& out.1@ == spec_msg_payload(front)
                    &&& out.2@.len() == spec_msg_descriptors(front).len()
                    &&& forall|i: int|
                        0 <= i < out.2@.len() ==> (#[trigger] out.2@[i]).port
                            == spec_msg_descriptors(front)[i].port
                },
                Err(code) => code == MACH_RCV_BODY_ERROR && !wf_message(front),
            }
        }),
{
    let first = t.dequeue(source, SMALL_MESSAGE_SIZE as u32);
    let (port, message) = match first {
        RecvOutcome::Delivered { port, message } => (port, message),
        RecvOutcome::TooLarge { reported_size } => {
            proof {
                let p = old(t).ready_port(source)->Some_0;
                old(t).lemma_ready_from_some(source, 0, p);
                assert(old(t).wf_entry(p - 1));
                assert(old(t).queue_of(p)[0] == old(t).entry(p).queue@[0]@);
            }
            let actual_size = match recv_retry_decision(MACH_RCV_TOO_LARGE, reported_size) {
                Some(size) => size,
                None => {
                    proof {
                        assert(false);
                    }
                    return Err(MACH_RCV_TOO_LARGE);
                },
            };
            match t.dequeue(source, actual_size) {
                RecvOutcome::Delivered { port, message } => (port, message),
                RecvOutcome::TooLarge { .. } => {
                    proof {
                        assert(false);
                    }
                    return Err(MACH_RCV_TOO_LARGE);
                },
            }
        },
    };
    let parsed = match parse_message(message.as_slice()) {
        Some(out) => out,
        None => {
            return Err(MACH_RCV_BODY_ERROR);
        },
    };
    let (payload, descriptors) = parsed;
    let mut channels: Vec<OpaqueMachChannel> = Vec::new();
    let n = descriptors.len();
    let mut i: usize = 0;
    while i < n
        invariant
            0 <= i <= n,
            n == descriptors@.len(),
            channels@.len() == i,
            forall|j: int|
                0 <= j < i ==> (#[trigger] channels@[j]).port == descriptors@[j].port,
        decreases n - i,
    {
        channels.push(OpaqueMachChannel::from_name(descriptors[i].port));
        i = i + 1;
    }
    Ok((port, payload, channels))
}

} // verus!

