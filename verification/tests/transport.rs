use mach_ipc::boot::{bootstrap_name_for, MachOneShotServer};
use mach_ipc::chan::{channel, recv_retry_decision, MachChannel, MachReceiverSet, MachSender};
use mach_ipc::table::{
    PortTable, BOOTSTRAP_UNKNOWN_SERVICE, MACH_MSG_SUCCESS, MACH_RCV_TOO_LARGE,
    MACH_SEND_INVALID_DEST, RECV_SIZE_CORRECTION,
};
use mach_ipc::wire::{
    build_message, message_size_of, parse_message, PortDescriptor, BODY_SIZE, DESCRIPTOR_SIZE,
    HEADER_SIZE, MACH_MSG_TYPE_COPY_SEND, MACH_MSG_TYPE_MOVE_RECEIVE, PREFIX_SIZE,
};

#[test]
fn payload_round_trip_no_endpoints() {
    let mut t = PortTable::new();
    let (tx, rx) = channel(&mut t).unwrap();
    tx.send(&mut t, &[1, 2, 3], Vec::new()).unwrap();
    let (payload, channels) = rx.recv(&mut t).unwrap();
    assert_eq!(payload, vec![1, 2, 3]);
    assert!(channels.is_empty());
}

#[test]
fn payload_round_trip_many_lengths() {
    let mut t = PortTable::new();
    let (tx, rx) = channel(&mut t).unwrap();
    for len in 0..50usize {
        let data: Vec<u8> = (0..len).map(|i| (i * 7 + len) as u8).collect();
        tx.send(&mut t, &data, Vec::new()).unwrap();
        let (payload, channels) = rx.recv(&mut t).unwrap();
        assert_eq!(payload, data);
        assert_eq!(channels.len(), 0);
    }
}

#[test]
fn empty_payload_zero_endpoints() {
    let mut t = PortTable::new();
    let (tx, rx) = channel(&mut t).unwrap();
    tx.send(&mut t, &[], Vec::new()).unwrap();
    let (payload, channels) = rx.recv(&mut t).unwrap();
    assert!(payload.is_empty());
    assert!(channels.is_empty());
}

#[test]
fn large_payload_spills_and_survives() {
    let mut t = PortTable::new();
    let (tx, rx) = channel(&mut t).unwrap();
    let data: Vec<u8> = (0..5000usize).map(|i| (i % 251) as u8).collect();
    tx.send(&mut t, &data, Vec::new()).unwrap();
    let (payload, channels) = rx.recv(&mut t).unwrap();
    assert_eq!(payload, data);
    assert!(channels.is_empty());
}

#[test]
fn wire_round_trip_descriptor_order_and_kind() {
    let descriptors = vec![
        PortDescriptor { port: 11, disposition: MACH_MSG_TYPE_COPY_SEND },
        PortDescriptor { port: 22, disposition: MACH_MSG_TYPE_MOVE_RECEIVE },
        PortDescriptor { port: 33, disposition: MACH_MSG_TYPE_COPY_SEND },
    ];
    let payload: Vec<u8> = vec![9, 8, 7, 6, 5];
    let buf = build_message(4, &payload, &descriptors);
    assert_eq!(buf.len(), message_size_of(payload.len(), descriptors.len()));
    let (parsed_payload, parsed_descriptors) = parse_message(buf.as_slice()).unwrap();
    assert_eq!(parsed_payload, payload);
    assert_eq!(parsed_descriptors, descriptors);
}

#[test]
fn wire_rejects_malformed_buffers() {
    assert!(parse_message(&[0u8; 27]).is_none());
    let mut buf = build_message(4, &[1, 2, 3], &Vec::new());
    // Corrupt the size field: a logical size beyond the buffer.
    buf[4] = 0xff;
    buf[5] = 0xff;
    assert!(parse_message(buf.as_slice()).is_none());
}

#[test]
fn message_size_formula() {
    // Header and body alone: 28 bytes, already aligned.
    assert_eq!(PREFIX_SIZE, HEADER_SIZE + BODY_SIZE);
    assert_eq!(message_size_of(0, 0), PREFIX_SIZE);
    // Each descriptor record adds 12 bytes.
    assert_eq!(message_size_of(0, 1), PREFIX_SIZE + DESCRIPTOR_SIZE);
    // One payload byte rounds up to the next 4-byte boundary.
    assert_eq!(message_size_of(1, 0), 32);
    assert_eq!(message_size_of(4, 0), 32);
    assert_eq!(message_size_of(3, 2), 56);
}

#[test]
fn one_shot_server_round_trip() {
    let mut t = PortTable::new();
    let (server, name) = MachOneShotServer::new(&mut t).unwrap();
    let tx = MachSender::connect(name.clone(), &mut t).unwrap();
    tx.send(&mut t, &[42, 43, 44], Vec::new()).unwrap();
    let (receiver, payload, channels) = server.accept(&mut t).unwrap();
    assert_eq!(payload, vec![42, 43, 44]);
    assert!(channels.is_empty());
    // The name is withdrawn once the one message has been accepted.
    assert!(MachSender::connect(name, &mut t).is_err());
    receiver.release(&mut t);
    tx.release(&mut t);
}

#[test]
fn abandoned_server_unpublishes() {
    let mut t = PortTable::new();
    let (server, name) = MachOneShotServer::new(&mut t).unwrap();
    server.release(&mut t);
    let err = MachSender::connect(name, &mut t).unwrap_err();
    assert_eq!(err, BOOTSTRAP_UNKNOWN_SERVICE);
}

#[test]
fn connect_unknown_name_fails() {
    let mut t = PortTable::new();
    let err = MachSender::connect(String::from("no.such.name"), &mut t).unwrap_err();
    assert_eq!(err, BOOTSTRAP_UNKNOWN_SERVICE);
}

#[test]
fn bootstrap_name_rendering() {
    assert_eq!(bootstrap_name_for(42), "org.rust-lang.ipc-channel.42");
    assert_eq!(bootstrap_name_for(0), "org.rust-lang.ipc-channel.0");
    assert_eq!(bootstrap_name_for(-7), "org.rust-lang.ipc-channel.-7");
    assert_eq!(
        bootstrap_name_for(i64::MIN),
        "org.rust-lang.ipc-channel.-9223372036854775808"
    );
}

#[test]
fn clone_then_release_all_exhausts_refcount() {
    let mut t = PortTable::new();
    let (tx, rx) = channel(&mut t).unwrap();
    let port = rx.port;
    assert_eq!(t.entries[(port - 1) as usize].send_refs, 1);
    let c1 = tx.clone_handle(&mut t);
    let c2 = tx.clone_handle(&mut t);
    let c3 = tx.clone_handle(&mut t);
    assert_eq!(t.entries[(port - 1) as usize].send_refs, 4);
    c1.release(&mut t);
    c2.release(&mut t);
    c3.release(&mut t);
    tx.release(&mut t);
    assert_eq!(t.entries[(port - 1) as usize].send_refs, 0);
    rx.release(&mut t);
}

#[test]
fn dead_destination_fails_cleanly() {
    let mut t = PortTable::new();
    let (tx, rx) = channel(&mut t).unwrap();
    rx.release(&mut t);
    let err = tx.send(&mut t, &[1], Vec::new()).unwrap_err();
    assert_eq!(err, MACH_SEND_INVALID_DEST);
    tx.release(&mut t);
}

#[test]
fn connect_after_receiver_gone_fails_cleanly() {
    let mut t = PortTable::new();
    let (server, name) = MachOneShotServer::new(&mut t).unwrap();
    let MachOneShotServer { receiver, name: _held } = server;
    receiver.release(&mut t);
    let err = MachSender::connect(name, &mut t).unwrap_err();
    assert_eq!(err, BOOTSTRAP_UNKNOWN_SERVICE);
}

#[test]
fn receiver_set_reports_the_member_that_fired() {
    let mut t = PortTable::new();
    let (_tx1, rx1) = channel(&mut t).unwrap();
    let (tx2, rx2) = channel(&mut t).unwrap();
    let set = MachReceiverSet::new(&mut t).unwrap();
    let id1 = set.add(&mut t, rx1).unwrap();
    let id2 = set.add(&mut t, rx2).unwrap();
    assert_ne!(id1, id2);
    tx2.send(&mut t, &[5, 6], Vec::new()).unwrap();
    let (fired, payload, channels) = set.recv(&mut t).unwrap();
    assert_eq!(fired, id2);
    assert_ne!(fired, id1);
    assert_eq!(payload, vec![5, 6]);
    assert!(channels.is_empty());
}

#[test]
fn transferred_receiver_delivers_to_new_holder() {
    let mut t = PortTable::new();
    let (a_tx, a_rx) = channel(&mut t).unwrap();
    let (c_tx, c_rx) = channel(&mut t).unwrap();
    a_tx.send(&mut t, &[], vec![MachChannel::Receiver(c_rx)]).unwrap();
    let (payload, mut channels) = a_rx.recv(&mut t).unwrap();
    assert!(payload.is_empty());
    assert_eq!(channels.len(), 1);
    let c_rx_again = channels[0].to_receiver();
    c_tx.send(&mut t, &[77, 78], Vec::new()).unwrap();
    let (payload, channels2) = c_rx_again.recv(&mut t).unwrap();
    assert_eq!(payload, vec![77, 78]);
    assert!(channels2.is_empty());
}

#[test]
fn transferred_sender_reaches_original_receiver() {
    let mut t = PortTable::new();
    let (a_tx, a_rx) = channel(&mut t).unwrap();
    let (b_tx, b_rx) = channel(&mut t).unwrap();
    a_tx.send(&mut t, &[1], vec![MachChannel::Sender(b_tx)]).unwrap();
    let (_, mut channels) = a_rx.recv(&mut t).unwrap();
    assert_eq!(channels.len(), 1);
    let b_tx_again = channels[0].to_sender();
    b_tx_again.send(&mut t, &[9], Vec::new()).unwrap();
    let (payload, _) = b_rx.recv(&mut t).unwrap();
    assert_eq!(payload, vec![9]);
}

#[test]
fn consume_marks_handle_null() {
    let mut t = PortTable::new();
    let (_tx, mut rx) = channel(&mut t).unwrap();
    let port = rx.port;
    let moved = rx.consume();
    assert_eq!(moved.port, port);
    assert_eq!(rx.port, 0);
    // Releasing the consumed-out handle is a no-op; the moved handle still
    // owns the right.
    rx.release(&mut t);
    assert!(t.entries[(port - 1) as usize].receive_live);
    moved.release(&mut t);
    assert!(!t.entries[(port - 1) as usize].receive_live);
}

#[test]
fn opaque_channel_classifies_once() {
    let mut t = PortTable::new();
    let (a_tx, a_rx) = channel(&mut t).unwrap();
    let (b_tx, _b_rx) = channel(&mut t).unwrap();
    a_tx.send(&mut t, &[], vec![MachChannel::Sender(b_tx)]).unwrap();
    let (_, mut channels) = a_rx.recv(&mut t).unwrap();
    let mut chan = channels.pop().unwrap();
    let first = chan.to_sender();
    assert_ne!(first.port, 0);
    // A second classification yields only a null-backed handle, and the
    // classified-out handle may then be disposed of.
    let second = chan.to_sender();
    assert_eq!(second.port, 0);
    chan.dispose();
}

#[test]
fn retry_decision_corrects_the_size_report() {
    // A too-large report is retried with the corrected size.
    assert_eq!(
        recv_retry_decision(MACH_RCV_TOO_LARGE, 5020),
        Some(5020 + RECV_SIZE_CORRECTION)
    );
    // Any other status asks for no retry.
    assert_eq!(recv_retry_decision(MACH_MSG_SUCCESS, 5020), None);
    // A report whose correction cannot be represented gives up.
    assert_eq!(recv_retry_decision(MACH_RCV_TOO_LARGE, u32::MAX), None);
}

#[test]
fn one_shot_round_trip_helper() {
    let mut t = PortTable::new();
    let data: Vec<u8> = (0..100u8).collect();
    let payload = mach_ipc::boot::one_shot_round_trip(&mut t, &data).unwrap();
    assert_eq!(payload, data);
}
