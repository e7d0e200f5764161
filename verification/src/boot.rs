//! The one-shot bootstrap protocol: publish a receiver under a fresh random
//! name so that an unrelated process can find it, accept exactly one
//! message, and withdraw the name on teardown.
//!
//! A bootstrap name is a fixed prefix followed by the decimal rendering of a
//! random signed 64-bit number. A name already taken is retried with fresh
//! entropy, up to a cap; an exhausted cap surfaces a distinct status instead
//! of looping forever.

use crate::chan::MachReceiver;
use crate::chan::MachSender;
use crate::chan::OpaqueMachChannel;
use crate::table::{
    PortTable, BOOTSTRAP_NAME_IN_USE, BOOTSTRAP_SUCCESS, BOOTSTRAP_UNKNOWN_SERVICE,
    KERN_INVALID_RIGHT, KERN_SUCCESS, KERN_UREFS_OVERFLOW, MACH_RCV_BODY_ERROR,
};
use crate::wire::{spec_msg_descriptors, spec_msg_payload, wf_message};
use vstd::assert_seqs_equal;
use vstd::prelude::*;
use vstd::string::StringExecFns;

verus! {

/// How many fresh random names a registration tries before giving up.
pub const MAX_NAME_ATTEMPTS: usize = 64;

/// Status for a registration that exhausted its retry cap: every generated
/// name was already taken.
pub const BOOTSTRAP_NAMESPACE_EXHAUSTED: i32 = 1199;

/// The decimal digit character for `d` in 0..10.
pub open spec fn spec_digit_char(d: int) -> char {
    if d == 0 {
        '0'
    } else if d == 1 {
        '1'
    } else if d == 2 {
        '2'
    } else if d == 3 {
        '3'
    } else if d == 4 {
        '4'
    } else if d == 5 {
        '5'
    } else if d == 6 {
        '6'
    } else if d == 7 {
        '7'
    } else if d == 8 {
        '8'
    } else {
        '9'
    }
}

/// The decimal rendering of a nonnegative number, most significant digit
/// first.
pub open spec fn spec_decimal(n: int) -> Seq<char>
    decreases n,
{
    if n < 10 {
        seq![spec_digit_char(n)]
    } else {
        spec_decimal(n / 10).push(spec_digit_char(n % 10))
    }
}

/// The decimal rendering of a signed number: a minus sign before the
/// magnitude when negative.
pub open spec fn spec_signed_decimal(n: int) -> Seq<char> {
    if n < 0 {
        seq!['-'] + spec_decimal(-n)
    } else {
        spec_decimal(n)
    }
}

/// The prefix under which every bootstrap name of this crate is published.
pub open spec fn spec_bootstrap_prefix() -> Seq<char> {
    "org.rust-lang.ipc-channel."@
}

/// The bootstrap name generated from entropy value `n`.
pub open spec fn spec_bootstrap_name(n: int) -> Seq<char> {
    spec_bootstrap_prefix() + spec_signed_decimal(n)
}

fn digit_str(d: u64) -> (s: &'static str)
    requires
        d < 10,
    ensures
        s@ == seq![spec_digit_char(d as int)],
{
    proof {
        reveal_strlit("0");
        reveal_strlit("1");
        reveal_strlit("2");
        reveal_strlit("3");
        reveal_strlit("4");
        reveal_strlit("5");
        reveal_strlit("6");
        reveal_strlit("7");
        reveal_strlit("8");
        reveal_strlit("9");
    }
    if d == 0 {
        "0"
    } else if d == 1 {
        "1"
    } else if d == 2 {
        "2"
    } else if d == 3 {
        "3"
    } else if d == 4 {
        "4"
    } else if d == 5 {
        "5"
    } else if d == 6 {
        "6"
    } else if d == 7 {
        "7"
    } else if d == 8 {
        "8"
    } else {
        "9"
    }
}

/// Appends the decimal rendering of `n` to `out`.
fn push_decimal(n: u64, out: &mut String)
    ensures
        final(out)@ == old(out)@ + spec_decimal(n as int),
    decreases n,
{
    if n < 10 {
        out.append(digit_str(n));
        proof {
            assert_seqs_equal!(out@ == old(out)@ + spec_decimal(n as int));
        }
    } else {
        push_decimal(n / 10, out);
        out.append(digit_str(n % 10));
        proof {
            assert_seqs_equal!(out@ == old(out)@ + spec_decimal(n as int));
        }
    }
}

/// The bootstrap name for entropy value `n`: the fixed prefix followed by
/// `n` in decimal.
pub fn bootstrap_name_for(n: i64) -> (s: String)
    ensures
        s@ == spec_bootstrap_name(n as int),
{
    let mut s: String = "org.rust-lang.ipc-channel.".to_owned();
    if n >= 0 {
        push_decimal(n as u64, &mut s);
    } else {
        proof {
            reveal_strlit("-");
        }
        s.append("-");
        if n == i64::MIN {
            push_decimal(9223372036854775808u64, &mut s);
        } else {
            push_decimal((-n) as u64, &mut s);
        }
    }
    proof {
        assert_seqs_equal!(s@ == spec_bootstrap_name(n as int));
    }
    s
}

/// Relies on `rand::random`: a signed 64-bit value drawn from the
/// thread-local generator. Nothing is promised of the value.
#[verifier::external_body]
fn random_i64() -> i64 {
    rand::random()
}

impl MachReceiver {
    /// Publishes this receiver in the bootstrap registry under a fresh
    /// random name, holding one extracted send right for the registry. A
    /// generated name already taken is silently replaced by another, up to
    /// [`MAX_NAME_ATTEMPTS`] tries; exhaustion surfaces
    /// [`BOOTSTRAP_NAMESPACE_EXHAUSTED`] with every right given back.
    pub fn register_bootstrap_name(&self, t: &mut PortTable) -> (r: Result<String, i32>)
        requires
            old(t).wf(),
            self.port != 0,
        ensures
            final(t).wf(),
            !old(t).is_receive(self.port) ==> r == Err::<String, i32>(KERN_INVALID_RIGHT)
                && *final(t) == *old(t),
            old(t).is_receive(self.port) && old(t).send_refs(self.port) == u32::MAX ==> r
                == Err::<String, i32>(KERN_UREFS_OVERFLOW) && *final(t) == *old(t),
            r is Ok ==> {
                let name = r->Ok_0;
                &&& old(t).is_receive(self.port)
                &&& (exists|k: int| name@ == spec_bootstrap_name(k))
                &&& !old(t).is_registered(name@)
                &&& final(t).is_registered(name@)
                &&& final(t).registered_port(name@) == Some(self.port)
                &&& forall|m: Seq<char>|
                    m != name@ ==> #[trigger] final(t).is_registered(m) == old(t).is_registered(m)
                        && final(t).registered_port(m) == old(t).registered_port(m)
                &&& final(t).entries@.len() == old(t).entries@.len()
                &&& forall|q: u32|
                    old(t).valid_name(q) && q != self.port ==> final(t).entry(q) == #[trigger] old(
                        t,
                    ).entry(q)
                &&& final(t).is_receive(self.port)
                &&& final(t).entry(self.port).send_refs == old(t).entry(self.port).send_refs + 1
                &&& final(t).entry(self.port).in_set == old(t).entry(self.port).in_set
                &&& final(t).entry(self.port).queue == old(t).entry(self.port).queue
            },
            old(t).is_receive(self.port) && old(t).send_refs(self.port) < u32::MAX && r is Err
                ==> r == Err::<String, i32>(BOOTSTRAP_NAMESPACE_EXHAUSTED),
            r == Err::<String, i32>(BOOTSTRAP_NAMESPACE_EXHAUSTED) ==> {
                &&& final(t).entries@.len() == old(t).entries@.len()
                &&& forall|q: u32|
                    old(t).valid_name(q) && q != self.port ==> final(t).entry(q) == #[trigger] old(
                        t,
                    ).entry(q)
                &&& final(t).entry(self.port).send_refs == old(t).entry(self.port).send_refs
                &&& final(t).entry(self.port).receive_live == old(t).entry(self.port).receive_live
                &&& final(t).entry(self.port).is_set == old(t).entry(self.port).is_set
                &&& final(t).entry(self.port).in_set == old(t).entry(self.port).in_set
                &&& final(t).entry(self.port).queue == old(t).entry(self.port).queue
                &&& forall|m: Seq<char>|
                    #[trigger] final(t).is_registered(m) == old(t).is_registered(m)
            },
            r == Err::<String, i32>(BOOTSTRAP_NAMESPACE_EXHAUSTED) ==> exists|k: int|
                old(t).is_registered(#[trigger] spec_bootstrap_name(k)),
    {
        let right = match t.extract_send_right(self.port) {
            Ok(right) => right,
            Err(code) => {
                return Err(code);
            },
        };
        let ghost t1 = *t;
        let mut attempts: usize = 0;
        while attempts < MAX_NAME_ATTEMPTS
            invariant
                *t == t1,
                t1.wf(),
                t1.valid_name(right),
                right == self.port,
                old(t).is_receive(self.port),
                old(t).send_refs(self.port) < u32::MAX,
                t1.entries@.len() == old(t).entries@.len(),
                t1.registry == old(t).registry,
                forall|q: u32|
                    old(t).valid_name(q) && q != self.port ==> t1.entry(q) == #[trigger] old(
                        t,
                    ).entry(q),
                t1.is_receive(self.port),
                t1.entry(self.port).send_refs == old(t).entry(self.port).send_refs + 1,
                t1.entry(self.port).in_set == old(t).entry(self.port).in_set,
                t1.entry(self.port).is_set == old(t).entry(self.port).is_set,
                t1.entry(self.port).receive_live == old(t).entry(self.port).receive_live,
                t1.entry(self.port).queue == old(t).entry(self.port).queue,
                attempts > 0 ==> exists|k: int|
                    old(t).is_registered(#[trigger] spec_bootstrap_name(k)),
            decreases MAX_NAME_ATTEMPTS - attempts,
        {
            let entropy = random_i64();
            let name = bootstrap_name_for(entropy);
            let code = t.register_name(name.clone(), right);
            if code == BOOTSTRAP_SUCCESS {
                return Ok(name);
            }
            proof {
                assert(code == BOOTSTRAP_NAME_IN_USE);
                assert(*t == t1);
                // The collision is a witness: a name of the bootstrap form
                // was already published before this call began.
                assert(t1.is_registered(name@));
                assert(old(t).is_registered(spec_bootstrap_name(entropy as int)));
            }
            attempts = attempts + 1;
        }
        let released = t.release_send_ref(right);
        proof {
            assert(released == KERN_SUCCESS);
        }
        Err(BOOTSTRAP_NAMESPACE_EXHAUSTED)
    }

    /// Withdraws a published bootstrap name from the registry.
    pub fn unregister_global_name(name: String, t: &mut PortTable) -> (r: Result<(), i32>)
        requires
            old(t).wf(),
        ensures
            final(t).wf(),
            final(t).entries == old(t).entries,
            old(t).is_registered(name@) ==> {
                &&& r is Ok
                &&& !final(t).is_registered(name@)
                &&& forall|m: Seq<char>|
                    m != name@ ==> #[trigger] final(t).is_registered(m) == old(t).is_registered(m)
                        && final(t).registered_port(m) == old(t).registered_port(m)
            },
            !old(t).is_registered(name@) ==> r == Err::<(), i32>(BOOTSTRAP_UNKNOWN_SERVICE)
                && *final(t) == *old(t),
    {
        let code = t.unregister_name(&name);
        if code == BOOTSTRAP_SUCCESS {
            Ok(())
        } else {
            Err(code)
        }
    }
}

/// A publish-once, accept-once rendezvous: a receiver published under a
/// random bootstrap name, good for exactly one incoming message.
pub struct MachOneShotServer {
    pub receiver: MachReceiver,
    pub name: String,
}

impl MachOneShotServer {
    /// The server's receiver is live in `t` and its name published to it.
    pub open spec fn valid_in(self, t: PortTable) -> bool {
        &&& self.receiver.port != 0
        &&& t.is_receive(self.receiver.port)
    }

    /// Creates a server: allocates a receiver, publishes it under a fresh
    /// random name, and returns the server beside the published name, which
    /// must reach the peer out of band.
    pub fn new(t: &mut PortTable) -> (r: Result<(MachOneShotServer, String), i32>)
        requires
            old(t).wf(),
            old(t).entries@.len() + 2 <= u32::MAX,
        ensures
            final(t).wf(),
            match r {
                Ok(out) => {
                    let srv = out.0;
                    let name = out.1;
                    &&& srv.name@ == name@
                    &&& srv.valid_in(*final(t))
                    &&& !old(t).valid_name(srv.receiver.port)
                    &&& (exists|k: int| name@ == spec_bootstrap_name(k))
                    &&& final(t).is_registered(name@)
                    &&& final(t).registered_port(name@) == Some(srv.receiver.port)
                    &&& forall|m: Seq<char>|
                        m != name@ ==> #[trigger] final(t).is_registered(m) == old(
                            t,
                        ).is_registered(m) && final(t).registered_port(m) == old(
                            t,
                        ).registered_port(m)
                    &&& final(t).entry(srv.receiver.port).send_refs == 1
                    &&& final(t).queue_of(srv.receiver.port) == Seq::<Seq<u8>>::empty()
                    &&& final(t).entries@.len() == old(t).entries@.len() + 1
                    &&& forall|q: u32|
                        old(t).valid_name(q) ==> final(t).entry(q) == #[trigger] old(t).entry(q)
                },
                Err(code) => {
                    &&& code == BOOTSTRAP_NAMESPACE_EXHAUSTED
                    &&& exists|k: int|
                        old(t).is_registered(#[trigger] spec_bootstrap_name(k))
                    &&& forall|m: Seq<char>|
                        #[trigger] final(t).is_registered(m) == old(t).is_registered(m)
                    &&& forall|q: u32|
                        old(t).valid_name(q) ==> final(t).entry(q) == #[trigger] old(t).entry(q)
                },
            },
    {
        let receiver = match MachReceiver::new(t) {
            Ok(receiver) => receiver,
            Err(code) => {
                proof {
                    assert(false);
                }
                return Err(code);
            },
        };
        let ghost t1 = *t;
        match receiver.register_bootstrap_name(t) {
            Ok(name) => {
                let out_name = name.clone();
                Ok((MachOneShotServer { receiver, name }, out_name))
            },
            Err(code) => {
                proof {
                    assert(code == BOOTSTRAP_NAMESPACE_EXHAUSTED);
                    let k = choose|k: int| t1.is_registered(#[trigger] spec_bootstrap_name(k));
                    assert(t1.is_registered(spec_bootstrap_name(k)));
                    assert(t1.registry == old(t).registry);
                    assert(old(t).is_registered(spec_bootstrap_name(k)));
                }
                let ghost t2 = *t;
                receiver.release(t);
                proof {
                    assert(t.registry == t2.registry);
                    assert forall|m: Seq<char>| #[trigger] t.is_registered(m) == old(
                        t,
                    ).is_registered(m) by {
                        assert(t2.is_registered(m) == t1.is_registered(m));
                        assert(t.is_registered(m) == t2.is_registered(m));
                        assert(t1.is_registered(m) == old(t).is_registered(m));
                    }
                }
                Err(code)
            },
        }
    }

    /// Accepts the one message this server exists for: consumes the
    /// server, receives once, withdraws the published name, and hands the
    /// now-plain receiver back beside the payload and endpoints.
    pub fn accept(self, t: &mut PortTable) -> (r: Result<
        (MachReceiver, Vec<u8>, Vec<OpaqueMachChannel>),
        i32,
    >)
        requires
            old(t).wf(),
            self.valid_in(*old(t)),
            old(t).has_pending(self.receiver.port),
        ensures
            final(t).wf(),
            !final(t).is_registered(self.name@),
            forall|m: Seq<char>|
                m != self.name@ ==> #[trigger] final(t).is_registered(m) == old(t).is_registered(
                    m,
                ),
            ({
                let p = self.receiver.port;
                let front = old(t).queue_of(p)[0];
                &&& old(t).ready_port(p) == Some(p)
                &&& final(t).entries@.len() == old(t).entries@.len()
                &&& forall|q: u32|
                    old(t).valid_name(q) && q != p ==> final(t).entry(q) == #[trigger] old(
                        t,
                    ).entry(q)
                &&& final(t).is_receive(p)
                &&& final(t).queue_of(p) == old(t).queue_of(p).drop_first()
                &&& final(t).entry(p).send_refs == old(t).entry(p).send_refs
                &&& match r {
                    Ok(out) => {
                        &&& out.0 == self.receiver
                        &&& wf_message(front)
                        &&& out.1@ == spec_msg_payload(front)
                        &&& out.2@.len() == spec_msg_descriptors(front).len()
                        &&& forall|i: int|
                            0 <= i < out.2@.len() ==> (#[trigger] out.2@[i]).port
                                == spec_msg_descriptors(front)[i].port
                    },
                    Err(code) => code == MACH_RCV_BODY_ERROR && !wf_message(front),
                }
            }),
    {
        proof {
            lemma_direct_ready(*old(t), self.receiver.port);
        }
        let MachOneShotServer { receiver, name } = self;
        let ghost t0 = *old(t);
        let received = receiver.recv(t);
        let ghost tmid = *t;
        let _ = t.unregister_name(&name);
        proof {
            assert forall|m: Seq<char>| m != name@ implies #[trigger] t.is_registered(m)
                == t0.is_registered(m) by {
                assert(tmid.is_registered(m) == t0.is_registered(m));
            }
            assert(!t.is_registered(name@));
        }
        match received {
            Ok(out) => Ok((receiver, out.0, out.1)),
            Err(code) => Err(code),
        }
    }

    /// Abandons the server without accepting: withdraws the published name
    /// (best effort) and gives the receive right back.
    pub fn release(self, t: &mut PortTable)
        requires
            old(t).wf(),
            self.valid_in(*old(t)),
        ensures
            final(t).wf(),
            !final(t).is_registered(self.name@),
            forall|m: Seq<char>|
                m != self.name@ ==> #[trigger] final(t).is_registered(m) == old(t).is_registered(
                    m,
                ),
            !final(t).is_receive(self.receiver.port),
    {
        let MachOneShotServer { receiver, name } = self;
        let ghost t0 = *old(t);
        let _ = t.unregister_name(&name);
        let ghost tmid = *t;
        receiver.release(t);
        proof {
            assert(t.registry == tmid.registry);
            assert forall|m: Seq<char>| m != name@ implies #[trigger] t.is_registered(m)
                == t0.is_registered(m) by {
                assert(tmid.is_registered(m) == t0.is_registered(m));
                assert(t.is_registered(m) == tmid.is_registered(m));
            }
            assert(!tmid.is_registered(name@));
            assert(!t.is_registered(name@));
        }
    }
}

/// Law: the one-shot rendezvous reproduces what was sent. Publishing a
/// name, connecting to it from a second endpoint, sending `data` with no
/// endpoints and accepting yields exactly the bytes of `data` back; the
/// only possible failure of the whole round trip is an exhausted name
/// space. Both rights are given back before returning.
pub fn one_shot_round_trip(t: &mut PortTable, data: &[u8]) -> (r: Result<Vec<u8>, i32>)
    requires
        old(t).wf(),
        old(t).entries@.len() + 2 <= u32::MAX,
        28 + data@.len() + 11 <= u32::MAX,
    ensures
        final(t).wf(),
        r is Ok ==> r->Ok_0@ == data@,
        r is Err ==> r == Err::<Vec<u8>, i32>(BOOTSTRAP_NAMESPACE_EXHAUSTED) && exists|k: int|
            old(t).is_registered(#[trigger] spec_bootstrap_name(k)),
{
    let (server, name) = match MachOneShotServer::new(t) {
        Ok(out) => out,
        Err(code) => {
            return Err(code);
        },
    };
    let ghost p = server.receiver.port;
    let tx = match MachSender::connect(name, t) {
        Ok(tx) => tx,
        Err(code) => {
            proof {
                assert(false);
            }
            return Err(code);
        },
    };
    match tx.send(t, data, Vec::new()) {
        Ok(_) => (),
        Err(code) => {
            proof {
                assert(false);
            }
            return Err(code);
        },
    }
    proof {
        assert(t.serves(p, p));
        assert(t.queue_of(p).len() > 0);
        assert(t.has_pending(p));
        lemma_direct_ready(*t, p);
        crate::chan::lemma_send_recv_round_trip(p, data@, Seq::<crate::chan::MachChannel>::empty());
        assert_seqs_equal!(
            crate::chan::spec_descriptors_of(Seq::<crate::chan::MachChannel>::empty())
                == Seq::<crate::wire::PortDescriptor>::empty()
        );
    }
    match server.accept(t) {
        Ok(out) => {
            let receiver = out.0;
            let payload = out.1;
            receiver.release(t);
            tx.release(t);
            Ok(payload)
        },
        Err(code) => {
            proof {
                assert(false);
            }
            Err(code)
        },
    }
}

/// A receive on a plain port (not a port set) with a pending message
/// always dequeues from that port itself.
pub proof fn lemma_direct_ready(t: PortTable, p: u32)
    requires
        t.wf(),
        t.is_receive(p),
        t.has_pending(p),
    ensures
        t.ready_port(p) == Some(p),
{
    let q = choose|q: u32| t.serves(p, q) && t.queue_of(q).len() > 0;
    assert(t.serves(p, q) && t.queue_of(q).len() > 0);
    assert(q == p);
    t.lemma_ready_port_exists(p);
    let found = t.ready_port(p)->Some_0;
    t.lemma_ready_from_some(p, 0, found);
    assert(t.serves(p, found));
    assert(found == p);
}

} // verus!
