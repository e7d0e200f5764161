//! A low-level inter-process transport in the style of Mach ports: messages
//! carry an opaque byte payload together with transferable communication
//! endpoints, endpoints are capability rights with explicit reference
//! counting, and well-known endpoints are published under bootstrap names.
//!
//! The crate is organised bottom-up:
//! - [`wire`] defines the exact binary layout of one message (header,
//!   endpoint descriptor array, payload, alignment padding) and proves that
//!   parsing inverts building.
//! - [`table`] is the port layer: a table of ports with receive rights,
//!   counted send rights, port sets and a bootstrap name registry, with the
//!   blocking send/receive primitives over it.
//! - [`chan`] is the public endpoint surface: `MachSender`, `MachReceiver`,
//!   `MachChannel`, `OpaqueMachChannel`, `MachReceiverSet`.
//! - [`boot`] is the one-shot bootstrap server and the random name protocol.

pub mod boot;
pub mod chan;
pub mod table;
pub mod wire;
